//! Display topologies, privacy and the virtual display.

use flux::encode::amf::ffi::to_wide;
use flux::server::waiting::{wait_step, WaitStep, REMOVAL_LIMIT_MS};
use flux::server::display_config::{
    check_status, copy_path_modes, extend_path, find_source_path, has_duplicate_active_source,
    luid_value, non_overlapping_position, query_step, required_adapter, set_virtual_mode,
    verify_config, ConfigStep, DisplayConfig, Luid, ModeInfo, ModeKind, PathInfo, Point,
    QueryStep, SignalInfo, SourceMode, MODE_INDEX_INVALID,
};
use flux::server::display::DisplayInfo;
use flux::server::privacy::{
    check_privacy, private_config, read_snapshot, verify_privacy, verify_restored,
    write_snapshot, PrivacyController, PrivacyStep,
};
use flux::server::virtual_display::{
    check_status_size, ctl_code_read, ctl_code_write, first_device_path, log_status, wide_text,
    DriverStatus, MonitorMode, PlugIn, VirtualDisplay,
};
use flux::types::{DesktopRect, Resolution};

const ADAPTER: Luid = Luid { low: 1, high: 0 };

fn path(source_id: u32, target_id: u32, modes: u32, active: bool) -> PathInfo {
    PathInfo {
        flags: active as u32,
        source_adapter: ADAPTER,
        source_id,
        source_mode: modes,
        target_adapter: ADAPTER,
        target_id,
        target_mode: modes + 1,
        target_available: true,
        refresh_numerator: 0,
        refresh_denominator: 0,
    }
}

fn mode(kind: ModeKind, width: u32, x: i32) -> ModeInfo {
    ModeInfo {
        kind,
        source: SourceMode { width, height: 1080, position: Point { x, y: 0 } },
        signal: SignalInfo {
            active_width: width,
            active_height: 1080,
            total_width: width,
            total_height: 1080,
            vsync_numerator: 60,
            vsync_denominator: 1,
            pixel_rate: 0,
        },
    }
}

fn two_displays() -> DisplayConfig {
    DisplayConfig {
        paths: vec![path(0, 10, 0, true), path(1, 11, 2, true)],
        modes: vec![
            mode(ModeKind::Source, 1920, 0),
            mode(ModeKind::Target, 1920, 0),
            mode(ModeKind::Source, 1280, 0),
            mode(ModeKind::Target, 1280, 0),
        ],
    }
}

fn names(list: &[&str]) -> Vec<String> {
    list.iter().map(|n| n.to_string()).collect()
}

#[test]
fn adapters_are_numbered() {
    assert_eq!(luid_value(Luid { low: 5, high: 1 }), 0x1_0000_0005);
    assert_eq!(luid_value(Luid { low: 0, high: -1 }), 0xffff_ffff_0000_0000);
}

#[test]
fn sources_are_found_by_name_then_by_adapter() {
    let mut paths = vec![path(0, 1, 0, true), path(1, 2, 0, true), path(2, 3, 0, true)];
    let found = find_source_path(&paths, &names(&["A", "B", "C"]), 9, "B");
    assert_eq!(found, Ok((1, 1)));
    assert_eq!(
        find_source_path(&paths, &names(&["A", "B", "C"]), 9, "D"),
        Err("CCD path never appeared for source D".to_string())
    );
    paths[2].source_adapter = Luid { low: 2, high: 0 };
    assert_eq!(find_source_path(&paths, &names(&["A", "B", "B"]), 2, "B"), Ok((2, 2)));
    assert_eq!(
        find_source_path(&paths, &names(&["A", "B", "B"]), 0xab, "B"),
        Err("CCD source B is ambiguous across 2 paths (DXGI adapter LUID 0x00000000000000AB)"
            .to_string())
    );
}

#[test]
fn cloned_sources_get_their_own() {
    let mut config = two_displays();
    config.paths[1].source_id = 0;
    assert!(has_duplicate_active_source(&config.paths, 1));
    assert!(!has_duplicate_active_source(&two_displays().paths, 1));
    let all = DisplayConfig {
        paths: vec![path(0, 11, 0, false), path(3, 11, 0, false)],
        modes: vec![mode(ModeKind::Source, 800, 0), mode(ModeKind::Target, 800, 0)],
    };
    let extended = extend_path(config, 1, &all).unwrap();
    assert_eq!(extended.paths[1].source_id, 3);
    assert_eq!((extended.paths[1].source_mode, extended.paths[1].target_mode), (4, 5));
    assert_eq!(extended.modes.len(), 6);

    let mut config = two_displays();
    config.paths[1].source_id = 0;
    let none = DisplayConfig { paths: Vec::new(), modes: Vec::new() };
    assert_eq!(
        extend_path(config, 1, &none).err(),
        Some("CCD target 11 has no independent source path for Extend".to_string())
    );
}

#[test]
fn modes_are_copied_or_refused() {
    let available = vec![mode(ModeKind::Source, 800, 0), mode(ModeKind::Target, 800, 0)];
    let mut modes = Vec::new();
    let copied = copy_path_modes(&path(0, 1, 0, false), &available, &mut modes).unwrap();
    assert_eq!((copied.source_mode, copied.target_mode), (0, 1));
    assert_eq!(modes.len(), 2);
    assert_eq!(
        copy_path_modes(&path(0, 1, 7, false), &available, &mut modes).err(),
        Some("CCD candidate source mode index 7 is invalid".to_string())
    );
    assert_eq!(
        copy_path_modes(&path(0, 1, 1, false), &available, &mut modes).err(),
        Some("CCD candidate target mode index 2 is invalid".to_string())
    );
    let mut swapped = path(0, 1, 0, false);
    swapped.source_mode = 1;
    swapped.target_mode = 0;
    assert_eq!(
        copy_path_modes(&swapped, &available, &mut modes).err(),
        Some("CCD candidate path has invalid source/target modes".to_string())
    );
    swapped.source_mode = MODE_INDEX_INVALID;
    assert_eq!(
        copy_path_modes(&swapped, &available, &mut modes).err(),
        Some("CCD path has no source mode".to_string())
    );
    assert_eq!(modes.len(), 2);
}

#[test]
fn the_virtual_display_lies_beside_the_others() {
    let config = two_displays();
    assert_eq!(non_overlapping_position(&config, 1), Ok(Point { x: 1920, y: 0 }));
    let (set, position) = set_virtual_mode(config, 1, 2560, 1440, 120).unwrap();
    assert_eq!(position, Point { x: 1920, y: 0 });
    assert_eq!(set.modes[2].source.width, 2560);
    assert_eq!(set.modes[3].signal.pixel_rate, 2560 * 1440 * 120);
    assert_eq!(set.paths[1].refresh_numerator, 120);
    let verified =
        verify_config(&set, &names(&["A", "V"]), "V", 1, 1, 2560, 1440, 120);
    assert_eq!(verified, Ok(position));
    let mismatch = verify_config(&set, &names(&["A", "V"]), "V", 1, 1, 1920, 1080, 60);
    assert_eq!(
        mismatch,
        Err("CCD verification mismatch: source=2560x1440 at (1920,0), target=2560x1440@120Hz"
            .to_string())
    );
    let elsewhere = verify_config(&set, &names(&["A", "V"]), "V", 1, 2, 2560, 1440, 120);
    assert_eq!(
        elsewhere,
        Err("CCD verification resolved source V on unexpected adapter LUID 0x0000000000000001 \
             (expected 0x0000000000000002)"
            .to_string())
    );
}

#[test]
fn modes_that_are_missing_are_told() {
    let mut config = two_displays();
    config.paths[0].source_mode = MODE_INDEX_INVALID;
    assert_eq!(
        set_virtual_mode(config, 1, 1, 1, 1).err(),
        Some("CCD path has no source mode".to_string())
    );
    let mut config = two_displays();
    config.paths[1].target_mode = 2;
    assert_eq!(
        set_virtual_mode(config, 1, 1, 1, 1).err(),
        Some("CCD target mode index 2 is not a target mode".to_string())
    );
    let mut config = two_displays();
    config.paths[1].source_mode = 9;
    assert_eq!(
        set_virtual_mode(config, 1, 1, 1, 1).err(),
        Some("CCD source mode index 9 is invalid".to_string())
    );
}

#[test]
fn inactive_and_cloned_paths_fail_the_check() {
    let mut config = two_displays();
    config.paths[1].flags = 0;
    assert_eq!(
        verify_config(&config, &names(&["A", "V"]), "V", 1, 1, 1280, 1080, 60),
        Err("CCD virtual path is not active after apply".to_string())
    );
    let mut config = two_displays();
    config.paths[1].source_id = 0;
    assert_eq!(
        verify_config(&config, &names(&["A", "V"]), "V", 1, 1, 1280, 1080, 60),
        Err("CCD virtual source remains cloned after apply".to_string())
    );
}

#[test]
fn statuses_are_read() {
    assert!(check_status(ConfigStep::Apply, 0).is_ok());
    assert_eq!(
        check_status(ConfigStep::Validate, 87),
        Err("CCD validate rejected (status 87): SetDisplayConfig".to_string())
    );
    assert_eq!(
        check_status(ConfigStep::RestoreApply, -1),
        Err("CCD restore apply failed (status -1): SetDisplayConfig".to_string())
    );
    assert!(matches!(query_step(0, 0), QueryStep::Done));
    assert!(matches!(query_step(2, 122), QueryStep::Again));
    assert!(matches!(query_step(3, 122), QueryStep::Failed(text)
        if text == "CCD query failed: topology changed while querying"));
    assert!(matches!(query_step(0, 5), QueryStep::Failed(text)
        if text == "CCD query failed (QueryDisplayConfig status 5)"));
}

#[test]
fn displays_without_an_adapter_are_refused() {
    let mut display = DisplayInfo {
        id: 1,
        name: "V".to_string(),
        native_resolution: Resolution::new(1, 1),
        primary: false,
        adapter_luid: None,
        desktop_rect: DesktopRect { left: 0, top: 0, width: 1, height: 1 },
    };
    assert_eq!(
        required_adapter(&display),
        Err("DXGI output V has no adapter LUID".to_string())
    );
    display.adapter_luid = Some(7);
    assert_eq!(required_adapter(&display), Ok(7));
}

#[test]
fn privacy_turns_all_other_displays_off() {
    let config = private_config(two_displays(), 1);
    assert_eq!((config.paths[0].flags, config.paths[1].flags), (0, 1));
    let active = DisplayConfig { paths: vec![config.paths[1]], modes: Vec::new() };
    let all_names = names(&["", "V"]);
    assert!(verify_privacy(&active, &names(&["V"]), 1, "V", &config, &all_names).is_ok());
    let before = two_displays();
    assert_eq!(
        verify_privacy(&active, &names(&["V"]), 1, "V", &before, &names(&["A", "V"])),
        Err("CCD privacy verification mismatch: a physical source remains active".to_string())
    );
    let off = DisplayConfig { paths: vec![path(1, 11, 2, false)], modes: Vec::new() };
    assert_eq!(
        verify_privacy(&off, &names(&["V"]), 1, "V", &config, &all_names),
        Err("CCD privacy verification mismatch: virtual path is inactive".to_string())
    );
    assert!(verify_restored(&before.paths, &before.paths).is_ok());
    assert!(verify_restored(&before.paths, &config.paths).is_err());
    assert!(verify_restored(&config.paths, &before.paths).is_ok());
}

#[test]
fn privacy_follows_the_viewers() {
    let mut controller = PrivacyController::new(true);
    assert_eq!(controller.update_viewer_count(0), PrivacyStep::Nothing);
    let step = controller.update_viewer_count(2);
    assert_eq!(step, PrivacyStep::Apply);
    assert!(!controller.step_done(step));
    assert_eq!(controller.update_viewer_count(1), PrivacyStep::Nothing);
    assert!(controller.needs_restore(false));
    let step = controller.update_viewer_count(0);
    assert_eq!(step, PrivacyStep::Restore);
    assert!(controller.step_done(step));
    assert!(!controller.needs_restore(false));
    assert!(controller.needs_restore(true));
    assert!(controller.restore(Err("no".to_string())).is_err());
    assert!(controller.restore(Ok(())).is_ok());
}

#[test]
fn privacy_needs_a_virtual_display_and_windows() {
    assert!(check_privacy(false, false, false).is_ok());
    assert!(check_privacy(true, true, true).is_ok());
    assert_eq!(
        check_privacy(true, false, true),
        Err("privacy mode requires [video.virtual_display]; refusing to disable the only display")
    );
    assert_eq!(
        check_privacy(true, true, false),
        Err("privacy mode is only supported on Windows")
    );
}

#[test]
fn topologies_are_saved_and_read_back() {
    let bytes = write_snapshot(&[1, 2, 3, 4], 2, &[5, 6, 7], 3);
    assert_eq!(bytes, vec![2, 0, 0, 0, 1, 2, 3, 4, 1, 0, 0, 0, 5, 6, 7]);
    assert_eq!(read_snapshot(&bytes, 2, 3), Ok((vec![1, 2, 3, 4], vec![5, 6, 7])));
    let text = |bytes: &[u8]| read_snapshot(bytes, 2, 3).unwrap_err();
    assert_eq!(text(&bytes[..14]), "privacy topology snapshot is truncated");
    assert_eq!(text(&[1, 0]), "privacy topology snapshot is truncated");
    let mut longer = bytes.clone();
    longer.push(0);
    assert_eq!(text(&longer), "privacy topology snapshot contains trailing data");
    assert_eq!(
        read_snapshot(&[255, 255, 255, 255], usize::MAX, 1),
        Err("privacy topology snapshot size overflow".to_string())
    );
    assert_eq!(
        read_snapshot(&[1, 0, 0, 0], usize::MAX, 1),
        Err("privacy topology snapshot offset overflow".to_string())
    );
}

fn driver_status(plugged: u32, busy: u32) -> DriverStatus {
    DriverStatus {
        d0_entry_ran: 1,
        adapter_init_async_status: 0,
        adapter_init_status: -1073741823,
        adapter_ready: 1,
        monitor_plugged_in: plugged,
        monitor_operation_in_progress: busy,
        adapter_init_finished_entry_count: 2,
        device_init_config_status: 0,
        device_initialize_status: 0,
        adapter_handle_nonnull: 1,
        adapter_config_size: 16,
        adapter_caps_size: 32,
        iddcx_version_major: 1,
        iddcx_version_minor: 9,
        iddcx_minimum_version_required: 4,
    }
}

#[test]
fn control_codes_match_the_driver() {
    assert_eq!(ctl_code_write(0x900), 0x0022_A400);
    assert_eq!(ctl_code_read(0x902), 0x0022_6408);
}

#[test]
fn monitors_are_plugged_in_or_adopted() {
    let mode = MonitorMode { width: 1920, height: 1080, refresh_hz: 60 };
    let mut owned = VirtualDisplay::plug_in(PlugIn::Plugged, "dev", mode).unwrap();
    assert!(!owned.was_adopted() && owned.plugs_out_on_drop());
    owned.unplug(Ok(())).unwrap();
    assert!(!owned.plugs_out_on_drop());
    assert!(owned.plug_in_mode(Err("no".to_string())).is_err());
    assert!(!owned.plugs_out_on_drop());
    owned.plug_in_mode(Ok(())).unwrap();
    assert!(owned.plugs_out_on_drop());

    let failed = |status| PlugIn::Failed { reason: "busy".to_string(), status };
    let adopted = VirtualDisplay::plug_in(failed(Some(driver_status(1, 0))), "dev", mode).unwrap();
    assert!(adopted.was_adopted());
    assert!(VirtualDisplay::plug_in(failed(Some(driver_status(1, 1))), "dev", mode).is_err());
    match VirtualDisplay::plug_in(failed(None), "dev", mode) {
        Err(text) => assert_eq!(
            text,
            "IOCTL_FLUXIDD_PLUG_IN failed: busy (device=dev, mode=1920x1080@60Hz, code=0x0022a400)"
        ),
        Ok(_) => panic!("plugged in"),
    }
}

#[test]
fn the_state_of_the_driver_is_told() {
    let text = log_status("now", &driver_status(1, 0));
    assert!(text.starts_with("FluxIdd status now: d0_entry_ran=1, adapter_init_async_status=0x00000000"));
    assert!(text.contains("adapter_init_status=0xc0000001"));
    assert!(text.ends_with("adapter_caps_size=32, iddcx_version=1.9 min=4"));
    assert!(check_status_size(60).is_ok());
    assert_eq!(
        check_status_size(8),
        Err("IOCTL_FLUXIDD_GET_STATUS returned 8 bytes, expected 60".to_string())
    );
}

#[test]
fn device_paths_end_with_zero() {
    assert_eq!(first_device_path(&[0x61, 0x62, 0, 0x63, 0, 0]), Ok("ab".to_string()));
    assert_eq!(first_device_path(&[0]), Err("no FluxIdd device interface present"));
    assert_eq!(first_device_path(&[0x61]), Err("no FluxIdd device interface present"));
    assert_eq!(wide_text(&[0x61, 0xD800, 0, 0x62]), "a\u{FFFD}");
    assert_eq!(wide_text(&[0x61, 0x62]), "ab");
    assert_eq!(wide_text(&to_wide("z\u{DF}\u{6C34}\u{1F34C}")), "z\u{DF}\u{6C34}\u{1F34C}");
    assert_eq!(wide_text(&[0xD83D, 0xDE00, 0xDE00, 0xE000]), "\u{1F600}\u{FFFD}\u{E000}");
}

#[test]
fn waiting_ends_with_a_find_or_the_limit() {
    assert_eq!(wait_step(0, REMOVAL_LIMIT_MS, None), WaitStep::Retry);
    assert_eq!(wait_step(1_999, 2_000, None), WaitStep::Retry);
    assert_eq!(wait_step(2_000, 2_000, None), WaitStep::GiveUp);
    assert_eq!(wait_step(9_999, 2_000, Some(3)), WaitStep::Found(3));
}
