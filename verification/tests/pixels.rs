//! Conversion and scaling of frames.

use flux::encode::nv12::{
    bt601_luma, bt601_u, bt601_v, frame_to_nv12, i420_to_nv12, packed_rgb_to_nv12,
    passthrough_nv12, ChannelOrder,
};
use flux::encode::scale::{downscale_frame, fit_within};
use flux::error::FluxError;
use flux::frame::{CapturedFrame, GpuFrameHandle};
use flux::types::{PixelFormat, Resolution};

fn check_reference_values() {
    // Black and white land on the BT.601 limited-range endpoints.
    assert_eq!(bt601_luma(0, 0, 0), 16);
    assert_eq!(bt601_luma(255, 255, 255), 235);
    assert_eq!(bt601_u(0, 0, 0), 128);
    assert_eq!(bt601_v(0, 0, 0), 128);
    // Pure red is a chroma extreme.
    assert!(bt601_v(255, 0, 0) > 200);
    assert!(bt601_u(0, 0, 255) > 200);
}

fn check_solid_bgra() {
    let (w, h) = (4usize, 4usize);
    let stride = w * 4;
    // Solid opaque red in BGRA byte order: B=0 G=0 R=255 A=255.
    let mut data = vec![0u8; stride * h];
    for px in data.chunks_mut(4) {
        px[0] = 0;
        px[1] = 0;
        px[2] = 255;
        px[3] = 255;
    }
    let nv12 = packed_rgb_to_nv12(&data, stride, w, h, ChannelOrder::Bgra).unwrap();
    assert_eq!(nv12.len(), w * h + w * (h / 2));

    let y = bt601_luma(255, 0, 0);
    assert!(nv12[..w * h].iter().all(|&p| p == y));

    let u = bt601_u(255, 0, 0);
    let v = bt601_v(255, 0, 0);
    for pair in nv12[w * h..].chunks(2) {
        assert_eq!(pair[0], u);
        assert_eq!(pair[1], v);
    }
}

fn check_channel_orders() {
    let (w, h) = (2usize, 2usize);
    let stride = w * 4;
    let mut rgba = vec![0u8; stride * h];
    for px in rgba.chunks_mut(4) {
        px[0] = 255; // R
        px[3] = 255; // A
    }
    let from_rgba = packed_rgb_to_nv12(&rgba, stride, w, h, ChannelOrder::Rgba).unwrap();
    // Same bytes, but interpreted as BGRA means the 255 is the blue channel.
    let from_bgra = packed_rgb_to_nv12(&rgba, stride, w, h, ChannelOrder::Bgra).unwrap();
    assert_ne!(from_rgba[0], from_bgra[0]);
}

fn check_i420() {
    let (w, h) = (2usize, 2usize);
    // Y(4) + U(1) + V(1) for a 2x2 frame.
    let data = vec![10, 11, 12, 13, 200, 50];
    let nv12 = i420_to_nv12(&data, w, w, h).unwrap();
    assert_eq!(&nv12[..4], &[10, 11, 12, 13]);
    assert_eq!(nv12[4], 200); // U
    assert_eq!(nv12[5], 50); // V
}

fn check_passthrough() {
    let (w, h) = (2usize, 2usize);
    let stride = 4; // padded
    let data = vec![
        1, 2, 0, 0, // Y row 0
        3, 4, 0, 0, // Y row 1
        5, 6, 0, 0, // UV row 0
    ];
    let nv12 = passthrough_nv12(&data, stride, w, h).unwrap();
    assert_eq!(nv12, vec![1, 2, 3, 4, 5, 6]);
}

#[test]
fn real_bt601_reference_values() {
    check_reference_values();
}

#[test]
fn nv12_bt601_reference_values() {
    check_reference_values();
}

#[test]
fn real_bgra_solid_color_to_nv12() {
    check_solid_bgra();
}

#[test]
fn nv12_bgra_solid_color_to_nv12() {
    check_solid_bgra();
}

#[test]
fn real_rgba_and_bgra_channel_orders_differ_for_red() {
    check_channel_orders();
}

#[test]
fn nv12_rgba_and_bgra_channel_orders_differ_for_red() {
    check_channel_orders();
}

#[test]
fn real_i420_interleaves_chroma() {
    check_i420();
}

#[test]
fn nv12_i420_interleaves_chroma() {
    check_i420();
}

#[test]
fn real_passthrough_nv12_strips_padding() {
    check_passthrough();
}

#[test]
fn nv12_passthrough_nv12_strips_padding() {
    check_passthrough();
}

#[test]
fn chroma_extremes_are_exact() {
    assert_eq!(bt601_luma(255, 0, 0), 82);
    assert_eq!(bt601_u(255, 0, 0), 90);
    assert_eq!(bt601_v(255, 0, 0), 240);
    assert_eq!(bt601_u(0, 0, 255), 240);
}

#[test]
fn short_buffers_are_refused() {
    assert!(packed_rgb_to_nv12(&[0; 15], 8, 2, 2, ChannelOrder::Bgra).is_err());
    assert!(passthrough_nv12(&[0; 5], 2, 2, 2).is_err());
    assert!(i420_to_nv12(&[0; 5], 2, 2, 2).is_err());
}

#[test]
fn frames_in_graphics_memory_are_not_converted() {
    let frame = CapturedFrame {
        sequence: 0,
        timestamp: 0,
        format: PixelFormat::Bgra8,
        resolution: Resolution::new(2, 2),
        stride: 8,
        data: Vec::new(),
        gpu_handle: Some(GpuFrameHandle::DxgiSharedTexture(7)),
    };
    assert!(frame_to_nv12(&frame, 2, 2).is_err());
}

fn solid_frame(w: u32, h: u32, px: [u8; 4]) -> CapturedFrame {
    CapturedFrame {
        sequence: 0,
        timestamp: 0,
        format: PixelFormat::Bgra8,
        resolution: Resolution::new(w, h),
        stride: w * 4,
        data: px.repeat((w * h) as usize),
        gpu_handle: None,
    }
}

#[test]
fn fit_within_no_change_when_smaller() {
    let r = fit_within(Resolution::new(1920, 1080), Resolution::new(4096, 4096));
    assert_eq!(r, Resolution::new(1920, 1080));
}

#[test]
fn fit_within_preserves_aspect_and_evenness() {
    let r = fit_within(Resolution::new(5120, 2160), Resolution::new(4096, 4096));
    assert_eq!(r, Resolution::new(4096, 1728));
    assert_eq!(r.width % 2, 0);
    assert_eq!(r.height % 2, 0);
}

#[test]
fn fit_within_height_limited() {
    let r = fit_within(Resolution::new(2160, 5120), Resolution::new(4096, 4096));
    assert_eq!(r, Resolution::new(1728, 4096));
}

#[test]
fn fitting_odd_sizes_are_rounded_down_to_even_ones() {
    let r = fit_within(Resolution::new(1921, 1081), Resolution::new(4096, 4096));
    assert_eq!(r, Resolution::new(1920, 1080));
    let r = fit_within(Resolution::new(1, 769), Resolution::new(4096, 4096));
    assert_eq!(r, Resolution::new(1, 769));
    let r = fit_within(Resolution::new(0, 769), Resolution::new(4096, 4096));
    assert_eq!(r, Resolution::new(0, 769));
}

#[test]
fn downscale_preserves_solid_color() {
    let frame = solid_frame(64, 64, [10, 200, 30, 255]);
    let out = downscale_frame(&frame, Resolution::new(32, 32)).unwrap();
    assert_eq!(out.resolution, Resolution::new(32, 32));
    assert_eq!(out.stride, 32 * 4);
    assert!(out.data.chunks_exact(4).all(|p| p == [10, 200, 30, 255]));
}

#[test]
fn downscale_rejects_planar_formats() {
    let mut frame = solid_frame(64, 64, [0; 4]);
    frame.format = PixelFormat::Nv12;
    assert!(downscale_frame(&frame, Resolution::new(32, 32)).is_err());
}

#[test]
fn downscale_rejects_gpu_only_frames() {
    let mut frame = solid_frame(64, 64, [0; 4]);
    frame.data.clear();
    assert!(downscale_frame(&frame, Resolution::new(32, 32)).is_err());
}

#[test]
fn downscale_rejects_upscale() {
    let frame = solid_frame(32, 32, [0; 4]);
    assert!(downscale_frame(&frame, Resolution::new(64, 64)).is_err());
}

#[test]
fn downscale_blends_neighbouring_pixels() {
    let mut frame = solid_frame(4, 2, [0; 4]);
    frame.data = vec![
        0, 4, 8, 255, 10, 4, 8, 255, 20, 4, 8, 255, 30, 4, 8, 255, //
        0, 4, 8, 255, 10, 4, 8, 255, 20, 4, 8, 255, 30, 4, 8, 255,
    ];
    let out = downscale_frame(&frame, Resolution::new(2, 2)).unwrap();
    // The second column is taken at 1.5, half way between 10 and 20.
    assert_eq!(&out.data[..8], &[0, 4, 8, 255, 15, 4, 8, 255]);
}

#[test]
fn downscale_names_the_frame_it_refuses() {
    let mut frame = solid_frame(64, 64, [0; 4]);
    frame.sequence = 9;
    frame.format = PixelFormat::I420;
    match downscale_frame(&frame, Resolution::new(32, 32)) {
        Err(FluxError::Encode { frame, .. }) => assert_eq!(frame, 9),
        other => panic!("{:?}", other.map(|f| f.sequence)),
    }
}
