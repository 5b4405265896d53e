//! The host: streaming, capture, displays, registration.

use flux::error::FluxError;
use flux::frame::CapturedFrame;
use flux::server::address::{advertised_address, frame_host, frame_port};
use flux::server::capture::{
    capture_failure, capture_fps, timestamp_micros, AfterRestart, CaptureFailure, CaptureLoop,
    FrameStep, Restart, VerifyStep,
};
use flux::server::display::{
    find_configured_display, find_new_display, find_output, select_display, DisplayInfo,
};
use flux::server::encoder::{
    base_config, encoder_backend_candidates, fit_config, BackendSearch, BuildTarget,
};
use flux::server::frames::{
    after_frame, feed_action, is_idr_frame, Arrival, FeedAction, FeedEvent, FrameResetPolicy,
    FrameSend, FrameSendResult, Interruption, SendStep, StreamFrame, FRAME_RESET_BACKLOG_THRESHOLD,
    FRAME_RESET_IDR_COOLDOWN,
};
use flux::server::registration::{
    base_of, machine_id, relay_base, Endpoints, Registration, RuntimeStatus, UrlParts,
    VideoSettings,
};
use flux::server::session::{SessionManager, SessionParams};
use flux::server::tray::{icon_rgba, menu_action, MenuIds, TrayAction, TrayState};
use flux::server::wire::{message_header, parse_command, Command, Dialect, Parsed};
use flux::types::{DesktopRect, EncoderBackend, PixelFormat, Resolution, VideoCodec};

#[test]
fn reset_requires_a_backlog() {
    let now = 0;
    let mut policy = FrameResetPolicy::default();
    assert!(!policy.should_reset(1, false, now));
    assert!(!policy.should_reset(FRAME_RESET_BACKLOG_THRESHOLD - 1, false, now));
    assert!(policy.should_reset(FRAME_RESET_BACKLOG_THRESHOLD, false, now));
}

#[test]
fn idr_frames_are_never_reset() {
    let now = 0;
    let mut policy = FrameResetPolicy::default();
    assert!(!policy.should_reset(FRAME_RESET_BACKLOG_THRESHOLD + 2, true, now));
}

#[test]
fn resets_are_rate_limited() {
    let now = 1_000;
    let mut policy = FrameResetPolicy::default();
    assert!(policy.should_reset(FRAME_RESET_BACKLOG_THRESHOLD, false, now));
    assert!(!policy.should_reset(FRAME_RESET_BACKLOG_THRESHOLD, false, now));
    assert!(policy.should_reset(
        FRAME_RESET_BACKLOG_THRESHOLD,
        false,
        now + FRAME_RESET_IDR_COOLDOWN
    ));
}

#[test]
fn detects_annex_b_idr_nalus() {
    assert!(is_idr_frame(&[0, 0, 0, 1, 5]));
    assert!(is_idr_frame(&[0, 0, 1, 5]));
    assert!(!is_idr_frame(&[0, 0, 0, 1, 1]));
}

#[test]
fn headers_are_big_endian() {
    assert_eq!(
        message_header(1, 0x0102030405060708, 0x090a0b0c),
        vec![1, 1, 2, 3, 4, 5, 6, 7, 8, 9, 10, 11, 12]
    );
}

#[test]
fn commands_are_read_off_the_stream() {
    let quic = |bytes: &[u8]| parse_command(bytes, Dialect::Quic);
    assert!(matches!(quic(&[]), Parsed::More(1)));
    assert!(matches!(
        quic(&[1]),
        Parsed::Complete { command: Command::RequestIdr, used: 1 }
    ));
    assert!(matches!(quic(&[2, 0, 0]), Parsed::More(2)));
    assert!(matches!(quic(&[2, 0, 0, 0, 3, b'{']), Parsed::More(2)));
    match quic(&[2, 0, 0, 0, 2, b'{', b'}', 9]) {
        Parsed::Complete { command: Command::Input(json), used } => {
            assert_eq!(json, b"{}");
            assert_eq!(used, 7);
        }
        other => panic!("{:?}", other),
    }
    assert!(matches!(quic(&[2, 0, 0x10, 0, 1]), Parsed::Close));
    assert!(matches!(quic(&[2, 0, 0x10, 0, 0]), Parsed::More(0x10_0000)));
    assert!(matches!(
        quic(&[3, 0, 0, 0x27, 0x10]),
        Parsed::Complete { command: Command::Bitrate(10_000), used: 5 }
    ));
    assert!(matches!(
        quic(&[4, 0, 0, 0, 2]),
        Parsed::Complete { command: Command::Viewers(2), used: 5 }
    ));
    assert!(matches!(
        quic(&[5, 6, 30]),
        Parsed::Complete { command: Command::Quality { level: 6, fps: 30 }, used: 3 }
    ));
    assert!(matches!(
        quic(&[6, 7, 128, 4, 56]),
        Parsed::Complete { command: Command::Resolution { width: 1920, height: 1080 }, used: 5 }
    ));
    assert!(matches!(quic(&[7]), Parsed::Close));
    assert!(matches!(
        parse_command(&[6, 7], Dialect::Tcp),
        Parsed::Complete { command: Command::Unknown(6), used: 1 }
    ));
}

fn stream_frame(timestamp: u64) -> StreamFrame {
    StreamFrame { timestamp, data: vec![timestamp as u8] }
}

#[test]
fn chunks_cover_a_frame() {
    let data = vec![9u8; 40_000];
    let mut send = FrameSend::new(&data);
    let mut covered = 0;
    while let SendStep::Write { start, end, interruptible } = send.next_step() {
        assert_eq!(start, covered);
        assert!(end - start <= 16 * 1024);
        assert!(interruptible);
        // A write can take fewer bytes than there are.
        let count = (end - start).min(10_000);
        covered += count;
        send.bytes_written(count);
    }
    assert_eq!(covered, 40_000);
    assert!(matches!(send.finish(), FrameSendResult::Complete));
}

#[test]
fn keyframes_are_not_interrupted() {
    let send = FrameSend::new(&[0, 0, 1, 0x65]);
    assert_eq!(send.next_step(), SendStep::Write { start: 0, end: 4, interruptible: false });
}

#[test]
fn newer_frames_supersede_a_stale_one() {
    let mut policy = FrameResetPolicy::default();
    let mut send = FrameSend::new(&[1; 100]);
    let step = send.interrupted(Arrival::Frame(stream_frame(1)), Vec::new(), &mut policy, 0);
    assert!(matches!(step, Interruption::Continue));
    let rest = vec![Arrival::Lagged(1), Arrival::Frame(stream_frame(3))];
    match send.interrupted(Arrival::Frame(stream_frame(2)), rest, &mut policy, 0) {
        Interruption::Reset(frame) => assert_eq!(frame.timestamp, 3),
        other => panic!("{:?}", other),
    }
    // The next one has to wait for the cooldown, so the newest frame only waits.
    let mut send = FrameSend::new(&[1; 100]);
    let rest = vec![Arrival::Frame(stream_frame(5)), Arrival::Frame(stream_frame(6))];
    let step = send.interrupted(Arrival::Frame(stream_frame(4)), rest, &mut policy, 1);
    assert!(matches!(step, Interruption::Continue));
    match send.finish() {
        FrameSendResult::Superseded(frame) => assert_eq!(frame.timestamp, 6),
        other => panic!("{:?}", other),
    }
}

#[test]
fn a_closed_queue_ends_the_connection() {
    let mut policy = FrameResetPolicy::default();
    let mut send = FrameSend::new(&[1; 100]);
    assert!(matches!(
        send.interrupted(Arrival::Lagged(7), vec![Arrival::Closed], &mut policy, 0),
        Interruption::Continue
    ));
    assert!(matches!(
        send.interrupted(
            Arrival::Frame(stream_frame(1)),
            vec![Arrival::Closed, Arrival::Frame(stream_frame(2))],
            &mut policy,
            0
        ),
        Interruption::Disconnected
    ));
    assert!(matches!(
        send.interrupted(Arrival::Closed, Vec::new(), &mut policy, 0),
        Interruption::Disconnected
    ));
}

#[test]
fn events_become_messages() {
    match feed_action(FeedEvent::Cursor { timestamp: 5, payload: Some(vec![1, 2]) }) {
        FeedAction::SendMessage { header, payload } => {
            assert_eq!(header, message_header(2, 5, 2));
            assert_eq!(payload, vec![1, 2]);
        }
        other => panic!("{:?}", other),
    }
    match feed_action(FeedEvent::Status { timestamp: 6, payload: vec![1] }) {
        FeedAction::SendMessage { header, .. } => assert_eq!(header, message_header(3, 6, 1)),
        other => panic!("{:?}", other),
    }
    let silent = FeedEvent::Cursor { timestamp: 5, payload: None };
    assert!(matches!(feed_action(silent), FeedAction::Wait));
    assert!(matches!(feed_action(FeedEvent::FramesLagged), FeedAction::Wait));
    assert!(matches!(feed_action(FeedEvent::FramesClosed), FeedAction::Close));
    assert!(matches!(feed_action(FeedEvent::StatusClosed), FeedAction::Close));
    let next = FrameSendResult::Superseded(stream_frame(8));
    assert!(matches!(after_frame(next), FeedAction::SendFrame(f) if f.timestamp == 8));
    assert!(matches!(after_frame(FrameSendResult::Disconnected), FeedAction::Close));
    assert_eq!(stream_frame(3).header(), message_header(1, 3, 1));
}

fn display(id: u32, name: &str, luid: u64, primary: bool) -> DisplayInfo {
    DisplayInfo {
        id,
        name: name.to_string(),
        native_resolution: Resolution::new(1920, 1080),
        primary,
        adapter_luid: Some(luid),
        desktop_rect: DesktopRect { left: 0, top: 0, width: 1920, height: 1080 },
    }
}

#[test]
fn only_the_given_output_is_captured() {
    let displays = vec![display(1, "A", 1, false), display(2, "B", 1, true)];
    assert_eq!(select_display(&displays, None), Some(1));
    assert_eq!(select_display(&displays, Some(&display(9, "A", 1, false))), Some(0));
    assert_eq!(select_display(&displays, Some(&display(9, "A", 2, false))), None);
    assert_eq!(select_display(&vec![display(1, "A", 1, false)], None), Some(0));
    assert_eq!(find_output(&displays, &display(0, "B", 1, false)), Some(1));
    assert_eq!(find_new_display(&displays, &vec!["A".to_string()]), Some(1));
    assert_eq!(find_new_display(&displays, &vec!["B".to_string(), "A".to_string()]), None);
    let target = display(0, "B", 1, false);
    assert_eq!(find_configured_display(&displays, &target, 1920, 1080), Some(1));
    assert_eq!(find_configured_display(&displays, &target, 1280, 720), None);
}

#[test]
fn quality_requests_are_clamped() {
    let mut state = CaptureLoop::new(60, 42, Resolution::new(1920, 1080), true);
    assert_eq!(state.state().quality_level, 10);
    assert!(!state.apply_quality(3, 30));
    assert_eq!((state.state().quality_level, state.state().fps_cap), (3, 30));
    state.apply_quality(0, 0);
    assert_eq!((state.state().quality_level, state.state().fps_cap), (10, 60));
    state.apply_quality(5, 200);
    assert_eq!(state.state().fps_cap, 60);
    state.apply_quality(11, 10);
    assert_eq!((state.state().quality_level, state.state().fps_cap), (5, 60));
}

#[test]
fn capture_follows_the_encoder() {
    let native = Resolution::new(5120, 2160);
    let fitted = Resolution::new(4096, 1728);
    let mut state = CaptureLoop::new(60, 6, native, false);
    assert_eq!(state.frame_captured(0, 16, native), FrameStep::Rebuild);
    let step = state.encoder_built(native, Some(fitted));
    assert!(step.request_idr && step.restart_capture);
    assert_eq!(state.capture_restarted(Restart::Scaled, native), AfterRestart::NextFrame);
    assert_eq!(state.state().capture_resolution, fitted);
    assert_eq!(state.frame_captured(10, 16, fitted), FrameStep::Drop);
    assert_eq!(state.frame_captured(16, 16, fitted), FrameStep::Encode);
    assert_eq!(state.state().frame_count, 3);
    assert!(state.wants_idr(true));
    assert_eq!(state.bitrate_change(&vec![1, 2]), Some(2));
    assert!(state.apply_quality(4, 0));

    assert_eq!(state.capture_restarted(Restart::Restored, native), AfterRestart::EncodeFrame);
    assert_eq!(state.state().cursor_source, native);
    assert_eq!(state.capture_restarted(Restart::Lost, native), AfterRestart::Stop);

    let step = state.encoder_built(native, None);
    assert!(!step.request_idr && !step.restart_capture);
    assert_eq!(state.bitrate_change(&vec![1, 2]), None);
    assert!(!state.wants_idr(true));
}

#[test]
fn frames_are_brought_to_the_size_of_the_encoder() {
    let captured = |w: u32, h: u32| CapturedFrame {
        sequence: 1,
        timestamp: 0,
        format: PixelFormat::Bgra8,
        resolution: Resolution::new(w, h),
        stride: w * 4,
        data: vec![5; (w * h * 4) as usize],
        gpu_handle: None,
    };
    let mut state = CaptureLoop::new(60, 6, Resolution::new(8, 8), false);
    state.encoder_built(Resolution::new(8, 8), Some(Resolution::new(4, 4)));
    let frame = state.prepare_frame(captured(8, 8)).unwrap();
    assert_eq!(frame.resolution, Resolution::new(4, 4));
    assert!(frame.data.iter().all(|&b| b == 5));
    assert!(state.prepare_frame(captured(4, 4)).is_ok());
    assert!(state.prepare_frame(captured(2, 2)).is_err());
}

#[test]
fn figures_are_reported_every_five_seconds() {
    let mut state = CaptureLoop::new(2, 6, Resolution::new(8, 8), true);
    for n in 0..10 {
        state.frame_captured(n * 100, 1, Resolution::new(8, 8));
        assert_eq!(state.packet_encoded(1_000), VerifyStep::Write);
    }
    // 1000 bytes a frame at two frames a second.
    assert_eq!(state.report(), Some(16));
    state.frame_captured(1_000, 1, Resolution::new(8, 8));
    assert_eq!(state.report(), None);
    assert_eq!(state.packet_encoded(1), VerifyStep::Close);
    assert_eq!(state.packet_encoded(1), VerifyStep::Nothing);
}

#[test]
fn lost_captures_are_opened_again() {
    let lost = FluxError::CaptureSessionLost("gone".to_string());
    assert_eq!(capture_failure(&lost), CaptureFailure::Reopen);
    assert_eq!(capture_failure(&FluxError::Gpu("busy".to_string())), CaptureFailure::Retry);
    assert_eq!(timestamp_micros(5_999, 1_000), 4);
    assert_eq!(timestamp_micros(1, 1_000), 0);
    assert_eq!(capture_fps(240), 144);
    assert_eq!(capture_fps(60), 60);
}

fn linux(encoder_ffmpeg: bool) -> BuildTarget {
    BuildTarget {
        windows: false,
        linux: true,
        encoder_ffmpeg,
        encoder_vaapi: true,
        encoder_vulkan: true,
    }
}

#[test]
fn encoders_are_tried_in_order() {
    assert_eq!(
        encoder_backend_candidates(None, linux(true)),
        vec![EncoderBackend::FfmpegVaapi, EncoderBackend::VulkanVideo, EncoderBackend::Software]
    );
    assert_eq!(
        encoder_backend_candidates(None, linux(false))[0],
        EncoderBackend::Vaapi
    );
    assert_eq!(
        encoder_backend_candidates(Some(EncoderBackend::Nvenc), linux(true)),
        vec![EncoderBackend::Nvenc, EncoderBackend::Software]
    );
    assert_eq!(
        encoder_backend_candidates(Some(EncoderBackend::Software), linux(true)),
        vec![EncoderBackend::Software]
    );
    let mut search = BackendSearch::new(Some(EncoderBackend::Nvenc), linux(true));
    assert_eq!(search.next(), Some(EncoderBackend::Nvenc));
    search.tried(false);
    assert_eq!(search.backend(), EncoderBackend::Nvenc);
    assert_eq!(search.next(), Some(EncoderBackend::Software));
    search.tried(true);
    assert_eq!(search.next(), None);
    assert_eq!(search.backend(), EncoderBackend::Software);
}

#[test]
fn stream_parameters_have_a_keyframe_every_two_seconds() {
    let config = base_config(60, Resolution::new(5120, 2160));
    assert_eq!(config.codec, VideoCodec::H264);
    assert_eq!(config.gop_size, 120);
    assert_eq!(base_config(0, Resolution::new(2, 2)).gop_size, 1);
    assert_eq!(base_config(u32::MAX, Resolution::new(2, 2)).gop_size, u32::MAX);
    let fit = fit_config(&config, Some(Resolution::new(4096, 4096)));
    assert_eq!(fit.resolution, Resolution::new(4096, 1728));
    assert_eq!(fit_config(&config, None), config);
}

#[test]
fn addresses_are_advertised() {
    assert_eq!(frame_port(8553), 8555);
    assert_eq!(frame_host(None, "0.0.0.0"), "127.0.0.1");
    assert_eq!(frame_host(None, "10.0.0.1"), "10.0.0.1");
    assert_eq!(frame_host(Some("relay.example"), "0.0.0.0"), "relay.example");
    assert_eq!(advertised_address("::1", true, 8555), "[::1]:8555");
    assert_eq!(advertised_address("[::1]", true, 8555), "[::1]:8555");
    assert_eq!(advertised_address("10.0.0.1", false, 8555), "10.0.0.1:8555");
}

#[test]
fn relay_urls_need_http_and_a_host() {
    assert_eq!(relay_base("https://Relay.example/base//").as_deref(), Some("https://relay.example/base"));
    assert_eq!(relay_base("http://relay.example").as_deref(), Some("http://relay.example"));
    assert_eq!(relay_base("ftp://relay.example"), None);
    assert_eq!(relay_base("not a url"), None);
    assert_eq!(relay_base("mailto:someone"), None);
    let parts = UrlParts {
        scheme: "http".to_string(),
        host: None,
        text: "http:".to_string(),
    };
    assert_eq!(base_of(&parts), None);
}

#[test]
fn machine_ids_are_kept_or_made() {
    assert_eq!(machine_id(Some(" \tabc\u{3000}\n")), ("abc".to_string(), false));
    let (id, fresh) = machine_id(Some(" \n"));
    assert!(fresh);
    assert_eq!(id.len(), 36);
    assert_eq!(id.chars().filter(|&c| c == '-').count(), 4);
    assert_eq!(id.as_bytes()[14], b'4');
    assert!("89ab".contains(id.as_bytes()[19] as char));
    assert_ne!(machine_id(None).0, id);
}

#[test]
fn registration_follows_the_runtime() {
    let video = VideoSettings {
        encoder: Some(EncoderBackend::Amf),
        virtual_display: None,
        max_width: 3840,
        max_height: 2160,
        max_fps: 240,
    };
    let registration = Registration::new(
        "id".to_string(),
        "host".to_string(),
        "127.0.0.1:8555".to_string(),
        "Linux".to_string(),
        "Amd".to_string(),
        video,
    );
    assert_eq!(registration.encoder_backend, "Amf");
    assert_eq!((registration.width, registration.height), (3840, 2160));
    assert_eq!(registration.target_fps, 144);
    let mut status = RuntimeStatus::default();
    let idle = registration.current(&status);
    assert_eq!(idle.display_name, "");
    assert_eq!(idle.width, 3840);
    status.display_name = Some("DP-1".to_string());
    status.encoder_opened(
        Resolution::new(5120, 2160),
        Resolution::new(4096, 1728),
        EncoderBackend::Software,
        9_000,
    );
    let current = registration.current(&status);
    assert_eq!(current.display_name, "DP-1");
    assert_eq!(current.encoder_backend, "Software");
    assert_eq!((current.width, current.height), (4096, 1728));
    assert_eq!(current.target_bitrate_kbps, 9_000);

    let endpoints = Endpoints::new("http://r", "id");
    assert_eq!(endpoints.report(true), "http://r/api/machines/register");
    assert_eq!(endpoints.report(false), "http://r/api/machines/id/heartbeat");
    assert_eq!(endpoints.deregister, "http://r/api/machines/id/deregister");
}

fn params(name: &str) -> SessionParams {
    SessionParams {
        client_name: name.to_string(),
        codec: VideoCodec::H264,
        resolution: Resolution::new(1920, 1080),
        fps: 60,
        video_bitrate_kbps: 10_000,
        audio_bitrate_kbps: 128,
        enable_input: true,
    }
}

#[test]
fn sessions_come_and_go() {
    let mut manager = SessionManager::new();
    let first = manager.create_session(params("a")).unwrap();
    let second = manager.create_session(params("b")).unwrap();
    assert_ne!(first, second);
    assert_eq!(manager.active_count(), 2);
    manager.destroy_session(&first).unwrap();
    manager.destroy_session(&first).unwrap();
    assert_eq!(manager.active_count(), 1);
    manager.start_session(second, params("c")).unwrap();
    assert_eq!(manager.active_count(), 1);
    manager.shutdown_all();
    assert_eq!(manager.active_count(), 0);
}

#[test]
fn test_tray_state_default() {
    let state = TrayState::default();
    assert_eq!(state.active_sessions, 0);
    assert!(state.server_name.is_empty());
    assert!(state.bind_address.is_empty());
}

#[test]
fn test_icon_rgba_buffer_size() {
    // The icon is 32x32 RGBA = 4096 bytes
    let size: u32 = 32;
    let expected_len = (size * size * 4) as usize;
    let rgba = icon_rgba();
    assert_eq!(rgba.len(), expected_len);
    assert_eq!(rgba.len(), 4096);
}

#[test]
fn the_icon_is_a_white_letter_on_blue() {
    let rgba = icon_rgba();
    let pixel = |x: usize, y: usize| &rgba[(y * 32 + x) * 4..(y * 32 + x) * 4 + 4];
    assert_eq!(pixel(0, 0), &[0, 0, 0, 0]);
    assert_eq!(pixel(2, 2), &[37, 99, 235, 255]);
    assert_eq!(pixel(10, 20), &[255, 255, 255, 255]);
    assert_eq!(pixel(21, 15), &[37, 99, 235, 255]);
}

#[test]
fn the_menu_shows_and_acts() {
    let state = TrayState {
        active_sessions: 12,
        server_name: "Flux".to_string(),
        bind_address: "0.0.0.0:1".to_string(),
    };
    assert_eq!(state.initial_status(), "Flux: Flux");
    assert_eq!(state.status_text(), "Flux: Flux (0.0.0.0:1)");
    assert_eq!(state.sessions_text(), "Active Sessions: 12");
    let ids = MenuIds {
        pin: "1".to_string(),
        config: "2".to_string(),
        quit: "3".to_string(),
    };
    assert_eq!(menu_action(&ids, &"1".to_string()), Some(TrayAction::ShowPin));
    assert_eq!(menu_action(&ids, &"2".to_string()), Some(TrayAction::OpenConfig));
    assert_eq!(menu_action(&ids, &"3".to_string()), Some(TrayAction::Quit));
    assert_eq!(menu_action(&ids, &"4".to_string()), None);
}
