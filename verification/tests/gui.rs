use quadcontrol::adb_probe::{CommandOutput, Device, DeviceState, ExecutionError, Transport};
use quadcontrol::gui::{
    android_devices, apply_pairing_result, apply_wda_poll, begin_pairing, cancel_pairing,
    claim_ios_slot, host_platform, ios_launch_allowed, poll_ios_status, session_blocks_start, session_entry, IosMeta, WindowDto, device_list, diff_fps, fps_from_elapsed,
    ios_slot_is_live, ios_status_dto, pairing_error_code, pairing_is_active, pairing_status_at,
    pairing_status_from, screenshot_file_name, screenshot_name_for, session_dto, slot_status, truncate_tail, validate_manual_inputs,
    wda_ids_from, IosSlot, PairingState, DEFAULT_WDA_BUNDLE_ID, DEFAULT_WDA_TESTRUNNER_ID,
    DEFAULT_WDA_XCTESTCONFIG,
};
use quadcontrol::ios::IosDevice;
use quadcontrol::ios_session::{ExitReason, IosSessionStatus};
use quadcontrol::scrcpy::SessionStatus;
use quadcontrol::wda::WindowSize;
use quadcontrol::wireless::WirelessError;
use std::time::{Duration, Instant};

#[test]
fn manual_pair_inputs_require_ip_literal_port_and_six_digits() {
    assert!(validate_manual_inputs(true, 37145, "123456").is_ok());
    assert!(validate_manual_inputs(false, 37145, "123456").is_err());
    assert!(validate_manual_inputs(true, 0, "123456").is_err());
    assert!(validate_manual_inputs(true, 37145, "12345x").is_err());
    assert!(validate_manual_inputs(true, 37145, "12345").is_err());
}

#[test]
fn late_worker_result_cannot_overwrite_new_generation() {
    let mut state = PairingState::Waiting {
        generation: 2,
        started: Instant::now(),
    };
    let cleared = apply_pairing_result(&mut state, 1, Ok("old".into()));
    assert!(!cleared);
    assert_eq!(pairing_status_from(&state).generation, 2);
    assert_eq!(pairing_status_from(&state).state, "waiting");
}

#[test]
fn fps_is_the_frame_delta_over_the_elapsed_time() {
    let start = Instant::now();
    assert_eq!(diff_fps(None, 90, start, 0), 0);
    assert_eq!(
        diff_fps(Some((90, start)), 105, start + Duration::from_secs(1), 0),
        15
    );
    assert_eq!(
        diff_fps(
            Some((90, start)),
            98,
            start + Duration::from_millis(500),
            15
        ),
        16
    );
    assert_eq!(
        diff_fps(Some((90, start)), 91, start + Duration::from_millis(10), 15),
        15
    );
    assert_eq!(
        diff_fps(Some((90, start)), 3, start + Duration::from_secs(1), 15),
        0
    );
}

#[test]
fn status_dto_never_carries_diagnostics() {
    let starting = ios_status_dto(&IosSessionStatus::Starting);
    assert_eq!(starting.state, "starting");
    assert_eq!(starting.proxy_port, None);

    let running = ios_status_dto(&IosSessionStatus::Running { proxy_port: 51234 });
    assert_eq!(running.state, "running");
    assert_eq!(running.proxy_port, Some(51234));
    assert_eq!(running.locked, None);
    assert_eq!(running.window, None);

    assert_eq!(
        ios_status_dto(&IosSessionStatus::Stopping).state,
        "stopping"
    );

    let exited = ios_status_dto(&IosSessionStatus::Exited {
        reason: ExitReason::UpstreamClosed,
    });
    assert_eq!(exited.state, "exited");
    assert_eq!(exited.exit_reason.as_deref(), Some("upstream_closed"));
    assert_eq!(exited.code, None);

    let failed = ios_status_dto(&IosSessionStatus::Failed {
        code: "wda_unreachable",
    });
    assert_eq!(failed.state, "failed");
    assert_eq!(failed.code.as_deref(), Some("wda_unreachable"));
}

#[test]
fn slot_placeholders_map_to_starting_and_failed() {
    assert_eq!(slot_status(&IosSlot::Starting), IosSessionStatus::Starting);
    assert_eq!(
        ios_status_dto(&slot_status(&IosSlot::Starting)).state,
        "starting"
    );

    let failed = slot_status(&IosSlot::Failed {
        code: "wda_signature_expired",
    });
    let dto = ios_status_dto(&failed);
    assert_eq!(dto.state, "failed");
    assert_eq!(dto.code.as_deref(), Some("wda_signature_expired"));
}

#[test]
fn starting_placeholder_blocks_a_second_start() {
    assert!(ios_slot_is_live(&IosSlot::Starting));
    assert!(!ios_slot_is_live(&IosSlot::Failed {
        code: "tunnel_failed"
    }));
}

#[test]
fn pairing_status_countdown_uses_backend_start_time() {
    let status = pairing_status_from(&PairingState::Waiting {
        generation: 7,
        started: Instant::now() - Duration::from_secs(2),
    });
    assert!(status.remaining_secs.unwrap() <= 298);
    assert!(status.remaining_secs.unwrap() > 0);
}

#[test]
fn pairing_results_settle_the_current_flow() {
    let mut state = PairingState::Cancelling { generation: 3 };
    assert!(pairing_is_active(&state));
    assert!(apply_pairing_result(&mut state, 3, Err("pair_failed")));
    assert_eq!(pairing_status_at(&state, 0).state, "idle");
    let mut waiting = PairingState::Waiting {
        generation: 4,
        started: Instant::now(),
    };
    assert!(apply_pairing_result(&mut waiting, 4, Ok("Pixel".into())));
    let status = pairing_status_at(&waiting, 0);
    assert_eq!(status.state, "succeeded");
    assert_eq!(status.device_name.as_deref(), Some("Pixel"));
    assert!(!pairing_is_active(&waiting));
    let countdown = pairing_status_at(
        &PairingState::Waiting {
            generation: 1,
            started: Instant::now(),
        },
        301,
    );
    assert_eq!(countdown.remaining_secs, Some(0));
}

#[test]
fn failures_become_stable_codes() {
    assert_eq!(pairing_error_code(&WirelessError::RoundTimedOut), "pair_timed_out");
    assert_eq!(pairing_error_code(&WirelessError::TimedOut), "pair_timed_out");
    assert_eq!(pairing_error_code(&WirelessError::Cancelled), "pair_cancelled");
    assert_eq!(pairing_error_code(&WirelessError::ServiceLost), "pair_failed");
    assert_eq!(
        android_devices(Err(ExecutionError::AdbNotFound)).unwrap_err(),
        "adb_not_found"
    );
    assert_eq!(
        android_devices(Ok(CommandOutput {
            status: 1,
            stdout: String::new(),
            stderr: String::new()
        }))
        .unwrap_err(),
        "adb_failed"
    );
}

#[test]
fn session_and_device_summaries() {
    let failed = session_dto("R5".into(), SessionStatus::Failed { message: "secret serial R5".into() });
    assert_eq!(failed.state, "failed");
    assert_eq!(failed.stderr_tail.as_deref(), Some("session_failed"));
    let exited = session_dto(
        "R5".into(),
        SessionStatus::Exited {
            code: 2,
            stderr_tail: "tail".into(),
        },
    );
    assert_eq!(exited.exit_code, Some(2));
    assert_eq!(exited.stderr_tail, None);
    assert_eq!(truncate_tail("abcdef".into(), 3), "def");
    assert_eq!(truncate_tail("ab".into(), 3), "ab");
    let list = device_list(
        Ok(vec![Device {
            serial: "R5".into(),
            state: DeviceState::Unauthorized,
            transport: Transport::Usb,
        }]),
        Ok(vec![IosDevice {
            id: "UDID".into(),
            name: "iPhone ····UDID".into(),
        }]),
    );
    assert_eq!(list.devices.len(), 2);
    assert_eq!(list.devices[0].status, "unauthorized");
    assert_eq!(list.devices[1].platform, "ios");
    assert_eq!(list.android_error, None);
    let failed_list = device_list(Err("adb_not_found"), Err("ios_not_found".into()));
    assert!(failed_list.devices.is_empty());
    assert_eq!(failed_list.android_error.as_deref(), Some("adb_not_found"));
}

#[test]
fn wda_ids_fall_back_for_blank_values() {
    let ids = wda_ids_from(Some("   ".into()), None, Some(String::new()));
    assert_eq!(ids.bundle_id, DEFAULT_WDA_BUNDLE_ID);
    assert_eq!(ids.testrunner_id, DEFAULT_WDA_TESTRUNNER_ID);
    assert_eq!(ids.xctestconfig, DEFAULT_WDA_XCTESTCONFIG);
    assert_eq!(
        wda_ids_from(Some("com.example.wda.xctrunner".into()), None, None).bundle_id,
        "com.example.wda.xctrunner"
    );
}

#[test]
fn fps_rounds_to_the_nearest_frame() {
    assert_eq!(fps_from_elapsed(15, 1_000_000_000, 0), 15);
    assert_eq!(fps_from_elapsed(1, 400_000_000, 0), 3);
    assert_eq!(fps_from_elapsed(1, 199_999_999, 7), 7);
}

#[test]
fn a_second_pairing_flow_is_refused_while_one_runs() {
    let mut state = PairingState::Idle;
    assert_eq!(begin_pairing(&mut state, 1, Instant::now()), Ok(()));
    assert!(pairing_is_active(&state));
    assert_eq!(
        begin_pairing(&mut state, 2, Instant::now()),
        Err("pairing_already_running")
    );
    assert_eq!(pairing_status_from(&state).generation, 1);
    assert!(cancel_pairing(&mut state));
    assert_eq!(pairing_status_from(&state).state, "cancelling");
    assert_eq!(
        begin_pairing(&mut state, 2, Instant::now()),
        Err("pairing_already_running")
    );
    assert!(!cancel_pairing(&mut state));
    let mut done = PairingState::Failed {
        generation: 3,
        code: "pairing_timeout",
    };
    assert!(!cancel_pairing(&mut done));
    assert_eq!(begin_pairing(&mut done, 4, Instant::now()), Ok(()));
    assert_eq!(pairing_status_from(&done).generation, 4);
}

#[test]
fn session_entries_show_a_tail_only_for_failures() {
    assert!(session_blocks_start(&SessionStatus::Running));
    assert!(session_blocks_start(&SessionStatus::Stopping));
    assert!(!session_blocks_start(&SessionStatus::Failed {
        message: "x".into()
    }));
    let long = "e".repeat(2100);
    let failed = session_entry(
        "dev".into(),
        SessionStatus::Exited {
            code: 2,
            stderr_tail: long,
        },
    );
    assert_eq!(failed.state, "exited");
    assert_eq!(failed.exit_code, Some(2));
    assert_eq!(failed.stderr_tail.unwrap().chars().count(), 2000);
    let clean = session_entry(
        "dev".into(),
        SessionStatus::Exited {
            code: 0,
            stderr_tail: "noise".into(),
        },
    );
    assert_eq!(clean.stderr_tail, None);
    let broken = session_entry(
        "dev".into(),
        SessionStatus::Failed {
            message: "serial 1234 leaked".into(),
        },
    );
    assert_eq!(broken.state, "failed");
    assert_eq!(broken.stderr_tail.as_deref(), Some("session_failed"));
}

#[test]
fn ios_slot_claims_only_when_nothing_runs() {
    let mut slot: Option<IosSlot> = None;
    assert_eq!(claim_ios_slot(&mut slot), Ok(()));
    assert_eq!(slot, Some(IosSlot::Starting));
    assert_eq!(claim_ios_slot(&mut slot), Err("ios_session_already_running"));
    let mut running = Some(IosSlot::Handle(IosSessionStatus::Running { proxy_port: 9100 }));
    assert_eq!(
        claim_ios_slot(&mut running),
        Err("ios_session_already_running")
    );
    let mut ended = Some(IosSlot::Handle(IosSessionStatus::Exited {
        reason: ExitReason::Requested,
    }));
    assert_eq!(claim_ios_slot(&mut ended), Ok(()));
    assert_eq!(ended, Some(IosSlot::Starting));
    let mut failed = Some(IosSlot::Failed {
        code: "ios_start_failed",
    });
    assert_eq!(claim_ios_slot(&mut failed), Ok(()));
}

#[test]
fn ios_status_poll_tracks_fps_and_window() {
    let start = Instant::now();
    let mut meta = IosMeta::new();
    let running = IosSessionStatus::Running { proxy_port: 9100 };
    let first = poll_ios_status(&running, 100, start, &mut meta);
    assert_eq!(first.state, "running");
    assert_eq!(first.fps, 0);
    assert_eq!(first.window, None);
    let mut second = poll_ios_status(&running, 130, start + Duration::from_secs(1), &mut meta);
    assert_eq!(second.fps, 30);
    apply_wda_poll(
        &mut second,
        &mut meta,
        Some(true),
        Some(WindowSize {
            width: 390,
            height: 844,
        }),
    );
    assert_eq!(second.locked, Some(true));
    assert_eq!(
        second.window,
        Some(WindowDto {
            width: 390,
            height: 844
        })
    );
    let mut third = poll_ios_status(&running, 160, start + Duration::from_secs(2), &mut meta);
    assert_eq!(third.fps, 30);
    assert_eq!(
        third.window,
        Some(WindowDto {
            width: 390,
            height: 844
        })
    );
    apply_wda_poll(&mut third, &mut meta, None, None);
    assert_eq!(third.locked, None);
    assert_eq!(
        third.window,
        Some(WindowDto {
            width: 390,
            height: 844
        })
    );
    let stopped = poll_ios_status(&IosSessionStatus::Stopping, 200, start, &mut meta);
    assert_eq!(stopped.state, "stopping");
    assert_eq!(stopped.fps, 0);
    assert_eq!(stopped.window, None);
    assert_eq!(meta.fps, 0);
    assert!(meta.frames.is_none());
    assert!(meta.window.is_none());
}

#[test]
fn windows_refuses_to_launch() {
    assert_eq!(
        ios_launch_allowed(true, false, true, true),
        Err("windows_session_unsupported")
    );
}

#[test]
fn macos_refuses_to_launch_without_the_development_switch() {
    assert_eq!(
        ios_launch_allowed(false, true, true, false),
        Err("macos_uses_iphone_mirroring")
    );
    assert_eq!(
        ios_launch_allowed(false, true, false, true),
        Err("macos_uses_iphone_mirroring")
    );
    assert_eq!(ios_launch_allowed(false, true, true, true), Ok(()));
    assert_eq!(ios_launch_allowed(false, false, false, false), Ok(()));
}

#[test]
fn host_platform_names_each_platform() {
    assert_eq!(host_platform(true, false), "macos");
    assert_eq!(host_platform(false, true), "windows");
    assert_eq!(host_platform(false, false), "linux");
}

#[test]
fn screenshot_file_name_carries_a_sortable_timestamp() {
    assert_eq!(
        screenshot_file_name(2026, 9, 14, 8, 5, 3).unwrap(),
        "QuadControl-20260914-080503.png"
    );
}

#[test]
fn screenshot_names_follow_the_calendar() {
    assert_eq!(
        screenshot_file_name(2024, 2, 29, 23, 59, 59).unwrap(),
        "QuadControl-20240229-235959.png"
    );
    assert_eq!(screenshot_file_name(2023, 2, 29, 0, 0, 0), None);
    assert_eq!(screenshot_file_name(2023, 4, 31, 0, 0, 0), None);
    assert_eq!(screenshot_file_name(2023, 13, 1, 0, 0, 0), None);
    assert_eq!(screenshot_file_name(2023, 1, 1, 24, 0, 0), None);
    assert_eq!(screenshot_name_for("stamp"), "QuadControl-stamp.png");
}
